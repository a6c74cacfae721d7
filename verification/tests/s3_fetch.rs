//! The footer-fetch plan run against real Parquet bytes, as an S3 object
//! would serve them, and the schema reports made from the fetched footer.

use bytes::Bytes;
use parquet::basic::{Repetition, Type as ParquetType};
use parquet::errors::ParquetError;
use parquet::file::properties::WriterProperties;
use parquet::file::reader::{ChunkReader, FileReader, Length, SerializedFileReader};
use parquet::file::writer::SerializedFileWriter;
use parquet::schema::types::Type;
use pqls::parquet_types::{ConvertedType, PhysicalType};
use pqls::s3::footer::{footer_range, footer_step, FooterBuffer, FooterStep};
use pqls::s3::list::{emit_plain, listing_row, sort_rows_by_key};
use pqls::schema::{emit_json, emit_text, ColumnInfo};
use std::io::Cursor;
use std::sync::Arc;

fn primitive_field(name: &str, physical: ParquetType) -> Arc<Type> {
    Arc::new(
        Type::primitive_type_builder(name, physical)
            .with_repetition(Repetition::OPTIONAL)
            .build()
            .unwrap(),
    )
}

fn parquet_with_schema(fields: Vec<Arc<Type>>) -> Vec<u8> {
    let schema = Arc::new(Type::group_type_builder("schema").with_fields(fields).build().unwrap());
    let props = Arc::new(WriterProperties::builder().build());
    let mut buf: Vec<u8> = Vec::new();
    let writer = SerializedFileWriter::new(&mut buf, schema, props).unwrap();
    writer.close().unwrap();
    buf
}

fn gen_multi_col() -> Vec<u8> {
    parquet_with_schema(vec![
        primitive_field("id", ParquetType::INT64),
        primitive_field("price", ParquetType::DOUBLE),
        primitive_field("qty", ParquetType::FLOAT),
        primitive_field("side", ParquetType::BYTE_ARRAY),
    ])
}

fn gen_wide_schema() -> Vec<u8> {
    let fields = (0..200)
        .map(|i| primitive_field(&format!("col_{:03}_{}", i, "x".repeat(426)), ParquetType::INT64))
        .collect();
    parquet_with_schema(fields)
}

/// Reads the footer through the library's buffer, as the binary does.
struct FooterReader(FooterBuffer);

impl Length for FooterReader {
    fn len(&self) -> u64 {
        self.0.len()
    }
}

impl ChunkReader for FooterReader {
    type T = Cursor<Bytes>;

    fn get_read(&self, start: u64) -> parquet::errors::Result<Self::T> {
        self.0.get_read(start).map(Cursor::new).map_err(ParquetError::General)
    }

    fn get_bytes(&self, start: u64, length: usize) -> parquet::errors::Result<Bytes> {
        self.0.get_bytes(start, length).map_err(ParquetError::General)
    }
}

/// Serves `bytes=a-b` of an object.
fn serve(object: &[u8], header: &str) -> Bytes {
    let range = header.strip_prefix("bytes=").unwrap();
    let (a, b) = range.split_once('-').unwrap();
    let (a, b): (usize, usize) = (a.parse().unwrap(), b.parse().unwrap());
    Bytes::copy_from_slice(&object[a..=b])
}

/// Fetches the footer as the binary does, counting the range requests.
fn fetch_footer(object: &[u8]) -> (FooterBuffer, usize) {
    let size = object.len() as u64;
    let plan = footer_range(size, "test-bucket/k.parquet").unwrap();
    let tail = serve(object, &plan.header);
    match footer_step(tail, size, plan.range_start, "test-bucket/k.parquet").unwrap() {
        FooterStep::Done(f) => (f, 1),
        FooterStep::Refetch { header } => {
            (FooterBuffer { bytes: serve(object, &header), file_size: size }, 2)
        }
    }
}

fn columns_of(footer: FooterBuffer) -> Vec<ColumnInfo> {
    let reader = SerializedFileReader::new(FooterReader(footer)).unwrap();
    let descr = reader.metadata().file_metadata().schema_descr();
    (0..descr.num_columns())
        .map(|i| {
            let c = descr.column(i);
            ColumnInfo {
                name: c.name().to_string(),
                physical_type: match c.physical_type() {
                    ParquetType::INT64 => PhysicalType::INT64,
                    ParquetType::DOUBLE => PhysicalType::DOUBLE,
                    ParquetType::FLOAT => PhysicalType::FLOAT,
                    _ => PhysicalType::BYTE_ARRAY,
                },
                logical_type: None,
                converted_type: ConvertedType::NONE,
                repetition: None,
            }
        })
        .collect()
}

#[test]
fn single_file_schema() {
    let object = gen_multi_col();
    let (footer, requests) = fetch_footer(&object);
    assert_eq!(requests, 1);
    let stdout = emit_text(&columns_of(footer), &None).join("\n");
    assert!(stdout.contains("id"), "expected 'id' in output: {stdout}");
    assert!(stdout.contains("price"), "expected 'price' in output: {stdout}");
    assert!(stdout.contains("qty"), "expected 'qty' in output: {stdout}");
    assert!(stdout.contains("side"), "expected 'side' in output: {stdout}");
    assert_eq!(stdout, "id INT64\nprice DOUBLE\nqty FLOAT\nside BYTE_ARRAY");
}

#[test]
fn schema_json_output() {
    let object = gen_multi_col();
    let (footer, _) = fetch_footer(&object);
    let cols = columns_of(footer);
    let doc = emit_json("s3://test-bucket/multi_col.parquet".to_string(), 0, 0, None, &cols, &None);
    let names: Vec<&str> = doc.fields.iter().map(|f| f.name.as_str()).collect();
    assert!(names.contains(&"id"), "missing 'id': {names:?}");
    assert!(names.contains(&"price"), "missing 'price': {names:?}");
}

#[test]
fn wide_schema_second_fetch() {
    let object = gen_wide_schema();
    let n = object.len();
    let footer_size = u32::from_le_bytes(object[n - 8..n - 4].try_into().unwrap()) as u64 + 8;
    assert!(
        footer_size > 65_536,
        "wide_schema footer ({footer_size} bytes) must exceed 65536 to exercise second-fetch path"
    );
    let (footer, requests) = fetch_footer(&object);
    assert_eq!(requests, 2, "expected exactly 2 range GETs for wide schema");
    assert_eq!(columns_of(footer).len(), 200);
}

#[test]
fn dir_listing_with_schemas() {
    let rows = sort_rows_by_key(vec![
        listing_row(Some("prefix/wide_schema.parquet".to_string()), Some(90_000), Some(0), "(col_000: int64)".to_string()),
        listing_row(Some("prefix/single_col.parquet".to_string()), Some(300), Some(0), "(value: int64)".to_string()),
        listing_row(Some("prefix/multi_col.parquet".to_string()), Some(500), None, "(id: int64, price: float64)".to_string()),
    ]);
    let stdout = emit_plain(&rows, "prefix/").join("\n");
    assert!(stdout.contains("single_col"), "listing missing single_col: {stdout}");
    assert!(stdout.contains("multi_col"), "listing missing multi_col: {stdout}");
    assert!(stdout.contains("wide_schema"), "listing missing wide_schema: {stdout}");
    assert!(stdout.contains('('), "listing missing schema briefs: {stdout}");
    assert!(stdout.starts_with("FILENAME"));
    assert!(stdout.contains("unknown"));
}
