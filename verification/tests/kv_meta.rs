use pqls::kv_meta::{emit_json, entry_lines, schema_payload, ArrowField};

#[test]
fn schema_payload_decodes_standard_and_url_safe() {
    let v = Some("aGVsbG8=".to_string());
    assert_eq!(schema_payload("ARROW:schema", &v), Some(b"hello".to_vec()));
    // `-` and `_` belong to the URL-safe alphabet only.
    let url = Some("-_8=".to_string());
    assert_eq!(schema_payload("ARROW:schema", &url), Some(vec![0xfb, 0xff]));
    assert_eq!(schema_payload("ARROW:schema", &Some("not base64!".to_string())), None);
    assert_eq!(schema_payload("other", &v), None);
    assert_eq!(schema_payload("ARROW:schema", &None), Some(vec![]));
}

#[test]
fn entry_lines_plain_and_schema() {
    assert_eq!(
        entry_lines("writer", &Some("pqls".to_string()), &None, &None),
        vec!["writer\tpqls"]
    );
    assert_eq!(entry_lines("empty", &None, &None, &None), vec!["empty\t"]);
    assert_eq!(
        entry_lines("ARROW:schema", &Some("!!é".to_string()), &None, &None),
        vec!["ARROW:schema\t(binary, 4 bytes)"]
    );
    assert_eq!(
        entry_lines("ARROW:schema", &Some("aGVsbG8=".to_string()), &Some(b"hello".to_vec()), &None),
        vec!["ARROW:schema\t(binary, 5 bytes)"]
    );
    let fields = vec![
        ArrowField { name: "id".to_string(), data_type: "Int64".to_string(), nullable: false },
        ArrowField { name: "ts".to_string(), data_type: "Timestamp(Millisecond, None)".to_string(), nullable: true },
    ];
    assert_eq!(
        entry_lines("ARROW:schema", &Some("x".to_string()), &Some(vec![1, 2]), &Some(fields)),
        vec![
            "ARROW:schema\t(decoded Arrow schema, 2 fields)",
            "  id: Int64",
            "  ts: Timestamp(Millisecond, None) [nullable]",
        ]
    );
}

#[test]
fn json_entries_sorted_last_wins() {
    let kvs = vec![
        ("b".to_string(), Some("1".to_string())),
        ("a".to_string(), None),
        ("b".to_string(), Some("2".to_string())),
        ("B".to_string(), Some("3".to_string())),
    ];
    assert_eq!(
        emit_json(&kvs),
        vec![
            ("B".to_string(), Some("3".to_string())),
            ("a".to_string(), None),
            ("b".to_string(), Some("2".to_string())),
        ]
    );
    assert_eq!(emit_json(&vec![]), vec![]);
}
