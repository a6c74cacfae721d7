# pqls

`pqls` inspects Apache Parquet files, directories of them (including
Hive-partitioned datasets) and S3 locations: row counts, schemas, column
statistics, key-value metadata, integrity checks, schema diffs, and row dumps
as CSV or NDJSON.

## Layout

- `src/` is the library, written in Verus and verified: option handling and
  usage errors, the text and JSON content of every report, schema diffs,
  partition grouping, footer checks, the S3 path grammar, the footer-fetch
  plan, listings and the row selection for sampling. Each public function
  states its result in its contract; the `law_*` proof functions state
  properties that span several calls.
- `app/` is the command-line binary: argument parsing with clap, file and S3
  I/O, polars scans and output. It hands plain values to the library and
  prints what the library returns.
- `tests/` runs the library on concrete values.

Exit status: 0 on success; 1 for file or path errors and for differing
`--diff` schemas; 2 for a corrupt or invalid file under `--check`, and for a
bad flag combination. These are the codes that pqls's user documentation
promises to scripts: the "Exit code contract" of the pqls README and the
exit-code list of its agent guide (`SKILL.md`), both of which give 2 for
corrupt or invalid Parquet.
